use async_operators::builder::OperatorBuilder;
use async_operators::connection::{
    Capability, ConnectedToMany, ConnectedToOne, Disconnected, InputCapability,
};
use async_operators::input::{AsyncInputHandle, Event, Poll};
use async_operators::operator::{DriverState, Operator, Step};
use async_operators::waker::TimelyWaker;
use timely::progress::Antichain;

fn elements(summary: &[Antichain<u64>]) -> Vec<Vec<u64>> {
    summary.iter().map(|frontier| frontier.elements().to_vec()).collect()
}

/// A task that forwards every record of input 0 to output 0, until the
/// input is done. Returns whether it has completed.
fn passthrough(operator: &mut Operator<AsyncInputHandle<ConnectedToOne, Vec<u64>>, u64>) -> bool {
    loop {
        match operator.input(0).poll_next() {
            Poll::Ready(Some(Event::Data(cap, data))) => {
                for item in data {
                    operator.output(0).give(&cap, item);
                }
            }
            Poll::Ready(Some(Event::Progress(_))) => {}
            Poll::Ready(None) => return true,
            Poll::Pending => return false,
        }
    }
}

#[test]
fn async_operator() {
    let mut op: OperatorBuilder<AsyncInputHandle<ConnectedToOne, Vec<u64>>, u64> =
        OperatorBuilder::new("async_passthru".to_string(), 1);
    let output = op.new_output();
    let (input, summary) = op.new_input_for(&output);
    assert_eq!(input, 0);
    assert_eq!(elements(&summary), vec![vec![0]]);
    let built = op.build();
    assert_eq!(built.capabilities, vec![Capability::new(0, 0)]);
    let (mut operator, mut waker) = (built.operator, built.waker);

    let mut extracted: Vec<(u64, u64)> = Vec::new();
    operator.input(0).deliver(InputCapability::new(0), (0..10).collect());
    // The task is ready for its first resume.
    assert_eq!(operator.schedule(&mut waker, &vec![Antichain::from_elem(0)]).step, Step::Resume);
    let completed = passthrough(&mut operator);
    assert!(!completed);
    let (reschedule, mut flushed) = operator.resumed(completed);
    assert!(reschedule);
    extracted.append(&mut flushed[0]);

    // The input closes: the task sees the empty frontier and completes.
    assert_eq!(operator.schedule(&mut waker, &vec![Antichain::new()]).step, Step::Resume);
    let completed = passthrough(&mut operator);
    assert!(completed);
    let (reschedule, mut flushed) = operator.resumed(completed);
    assert!(!reschedule);
    extracted.append(&mut flushed[0]);
    assert_eq!(operator.driver_state(), DriverState::Stopped);

    let times: Vec<u64> = extracted.iter().map(|(time, _)| *time).collect();
    let records: Vec<u64> = extracted.iter().map(|(_, record)| *record).collect();
    assert_eq!(times, vec![0; 10]);
    assert_eq!(records, vec![0, 1, 2, 3, 4, 5, 6, 7, 8, 9]);
}

#[test]
fn gh_18837() {
    // The producer of worker 0, among two workers, downgrades its
    // capability to 1 and keeps it around forever.
    let mut producer: OperatorBuilder<AsyncInputHandle<Disconnected, Vec<u64>>, usize> =
        OperatorBuilder::new("producer".to_string(), 2);
    producer.new_output();
    let built = producer.build();
    let (mut producer, mut producer_waker) = (built.operator, built.waker);
    let (mut capabilities, mut producer_button) = (built.capabilities, built.button);
    let mut cap = capabilities.pop().unwrap();
    assert_eq!(cap, Capability::new(0, 0));
    // Worker 0 downgrades to 1 and keeps the capability around forever.
    cap.downgrade(1);
    let held = cap;

    assert_eq!(producer.schedule(&mut producer_waker, &vec![]).step, Step::Resume);
    // The task is pending.
    assert_eq!(producer.resumed(false).0, true);

    // The consumer never observes a frontier greater than [1].
    let mut consumer: OperatorBuilder<AsyncInputHandle<Disconnected, Vec<usize>>, u64> =
        OperatorBuilder::new("consumer".to_string(), 2);
    let (input, summary) = consumer.new_disconnected_input();
    assert_eq!(input, 0);
    assert!(summary.is_empty());
    let built = consumer.build();
    let (mut consumer, mut waker) = (built.operator, built.waker);
    let observe = |consumer: &mut Operator<AsyncInputHandle<Disconnected, Vec<usize>>, u64>| {
        while let Poll::Ready(Some(event)) = consumer.input(0).poll_next() {
            if let Event::Progress(frontier) = event {
                assert!(frontier.less_equal(&held.time()));
            }
        }
    };
    assert_eq!(consumer.schedule(&mut waker, &vec![Antichain::from_elem(0)]).step, Step::Resume);
    observe(&mut consumer);
    assert!(consumer.resumed(false).0);
    assert_eq!(consumer.schedule(&mut waker, &vec![Antichain::from_elem(1)]).step, Step::Resume);
    observe(&mut consumer);
    assert!(consumer.resumed(false).0);

    // Worker 0 drops its tokens: its producer button is pressed. The other
    // worker has not pressed, so the producer keeps its task, and with it
    // the capability, however often it is scheduled.
    assert_eq!(producer.press(&mut producer_button), 2);
    assert!(producer.deliver_press());
    for _ in 0..100 {
        assert_eq!(producer.schedule(&mut producer_waker, &vec![]).step, Step::Done { reschedule: true });
        assert_eq!(producer.driver_state(), DriverState::Running);
    }
    // The frontier that the consumer is told of stays where it is.
    for _ in 0..100 {
        assert_eq!(
            consumer.schedule(&mut waker, &vec![Antichain::from_elem(1)]).step,
            Step::Done { reschedule: true }
        );
        assert_eq!(consumer.frontier(0), vec![1]);
    }
    // Only when the other worker has pressed as well does the producer stop.
    assert!(producer.deliver_press());
    assert_eq!(producer.schedule(&mut producer_waker, &vec![]).step, Step::Done { reschedule: false });
    assert_eq!(producer.driver_state(), DriverState::Stopped);
}

#[test]
fn builder_counts_inputs_and_outputs() {
    let mut op: OperatorBuilder<AsyncInputHandle<ConnectedToMany<2>, u64>, u64> =
        OperatorBuilder::new("shape".to_string(), 1);
    assert_eq!(op.output_count(), 0);
    assert_eq!(op.new_output(), 0);
    assert_eq!(op.new_output(), 1);
    let (first, summary) = op.new_input_for_many([1, 0]);
    assert_eq!(first, 0);
    assert_eq!(elements(&summary), vec![vec![0], vec![0]]);
    assert_eq!(op.new_output(), 2);
    let (second, summary) = op.new_input_for_many([2, 2]);
    assert_eq!(second, 1);
    assert_eq!(elements(&summary), vec![vec![], vec![], vec![0]]);
    let built = op.build();
    let (operator, capabilities) = (built.operator, built.capabilities);
    assert_eq!(operator.input_count(), 2);
    assert_eq!(operator.output_count(), 3);
    assert_eq!(
        capabilities,
        vec![Capability::new(0, 0), Capability::new(0, 1), Capability::new(0, 2)]
    );
    assert_eq!(operator.frontier(0), vec![0]);
    assert_eq!(operator.frontier(1), vec![0]);
    assert_eq!(operator.driver_state(), DriverState::Running);
    assert!(!operator.is_polling());
}

#[test]
fn summary_covers_the_outputs_declared_so_far() {
    let mut op: OperatorBuilder<AsyncInputHandle<Disconnected, u64>, u64> =
        OperatorBuilder::new("shape".to_string(), 1);
    let (_, summary) = op.new_input_connection(Disconnected);
    assert!(summary.is_empty());
    op.new_output();
    op.new_output();
    let (_, summary) = op.new_disconnected_input();
    assert_eq!(elements(&summary), vec![Vec::<u64>::new(), Vec::<u64>::new()]);
}

fn single_input() -> (Operator<AsyncInputHandle<ConnectedToOne, Vec<u64>>, u64>, TimelyWaker) {
    let mut op: OperatorBuilder<AsyncInputHandle<ConnectedToOne, Vec<u64>>, u64> =
        OperatorBuilder::new("single".to_string(), 1);
    let output = op.new_output();
    op.new_input_for(&output);
    let built = op.build();
    (built.operator, built.waker)
}

fn progress(operator: &mut Operator<AsyncInputHandle<ConnectedToOne, Vec<u64>>, u64>) -> Vec<u64> {
    match operator.input(0).next_sync() {
        Some(Event::Progress(frontier)) => frontier.elements().to_vec(),
        other => panic!("expected progress, got {:?}", other),
    }
}

#[test]
fn frontier_is_announced_only_when_it_advances() {
    let (mut operator, mut waker) = single_input();
    // The minimum frontier is known from the start: nothing is announced.
    assert_eq!(operator.schedule(&mut waker, &vec![Antichain::from_elem(0)]).step, Step::Resume);
    assert!(operator.input(0).next_sync().is_none());
    operator.resumed(false);

    operator.schedule(&mut waker, &vec![Antichain::from_elem(3)]).step;
    assert_eq!(operator.frontier(0), vec![3]);
    assert_eq!(progress(&mut operator), vec![3]);

    // The same frontier again, or an earlier one, is not announced, and
    // the known frontier does not move back.
    operator.schedule(&mut waker, &vec![Antichain::from_elem(3)]).step;
    assert!(operator.input(0).next_sync().is_none());
    operator.schedule(&mut waker, &vec![Antichain::from_elem(2)]).step;
    assert!(operator.input(0).next_sync().is_none());
    assert_eq!(operator.frontier(0), vec![3]);

    operator.schedule(&mut waker, &vec![Antichain::from_elem(4)]).step;
    assert_eq!(progress(&mut operator), vec![4]);
    operator.schedule(&mut waker, &vec![Antichain::new()]).step;
    assert_eq!(progress(&mut operator), Vec::<u64>::new());
    assert_eq!(operator.frontier(0), Vec::<u64>::new());
    // Nothing is beyond the empty frontier.
    operator.schedule(&mut waker, &vec![Antichain::from_elem(9)]).step;
    assert!(operator.input(0).next_sync().is_none());
    assert_eq!(operator.frontier(0), Vec::<u64>::new());
}

#[test]
fn progress_comes_before_the_data_of_the_same_invocation() {
    let (mut operator, mut waker) = single_input();
    operator.input(0).deliver(InputCapability::new(1), vec![7]);
    operator.schedule(&mut waker, &vec![Antichain::from_elem(1)]).step;
    assert_eq!(progress(&mut operator), vec![1]);
    match operator.input(0).next_sync() {
        Some(Event::Data(cap, data)) => {
            assert_eq!(cap, Capability::new(1, 0));
            assert_eq!(data, vec![7]);
        }
        other => panic!("expected data, got {:?}", other),
    }
}

#[test]
fn task_is_resumed_only_when_woken() {
    let (mut operator, mut waker) = single_input();
    assert_eq!(operator.schedule(&mut waker, &vec![Antichain::from_elem(0)]).step, Step::Resume);
    assert!(operator.is_polling());
    // The task does not register for anything and stays pending.
    assert_eq!(operator.resumed(false).0, true);
    assert!(!operator.is_polling());
    // Nothing has woken it: it is left alone, whatever arrives.
    assert_eq!(
        operator.schedule(&mut waker, &vec![Antichain::from_elem(0)]).step,
        Step::Done { reschedule: true }
    );
    operator.input(0).deliver(InputCapability::new(0), vec![1]);
    assert_eq!(
        operator.schedule(&mut waker, &vec![Antichain::from_elem(5)]).step,
        Step::Done { reschedule: true }
    );
    // A wake-up from outside asks for an activation and has it resumed.
    assert!(waker.wake_by_ref());
    assert_eq!(operator.schedule(&mut waker, &vec![Antichain::from_elem(5)]).step, Step::Resume);
    operator.resumed(false);
    assert_eq!(
        operator.schedule(&mut waker, &vec![Antichain::from_elem(5)]).step,
        Step::Done { reschedule: true }
    );
}

#[test]
fn waiting_task_is_woken_by_input_and_by_progress() {
    let (mut operator, mut waker) = single_input();
    assert_eq!(operator.schedule(&mut waker, &vec![Antichain::from_elem(0)]).step, Step::Resume);
    assert!(!passthrough(&mut operator));
    operator.resumed(false);
    // The task waits on its input. Data wakes it.
    operator.input(0).deliver(InputCapability::new(0), vec![1]);
    assert_eq!(operator.schedule(&mut waker, &vec![Antichain::from_elem(0)]).step, Step::Resume);
    assert!(!passthrough(&mut operator));
    let (_, flushed) = operator.resumed(false);
    assert_eq!(flushed, vec![vec![(0, 1)]]);
    // Progress wakes it.
    assert_eq!(operator.schedule(&mut waker, &vec![Antichain::from_elem(1)]).step, Step::Resume);
    assert!(!passthrough(&mut operator));
    operator.resumed(false);
    // Nothing new does not.
    assert_eq!(
        operator.schedule(&mut waker, &vec![Antichain::from_elem(1)]).step,
        Step::Done { reschedule: true }
    );
}

#[test]
fn outputs_are_flushed_even_without_progress_of_the_task() {
    let (mut operator, mut waker) = single_input();
    operator.output(0).give(&Capability::new(0, 0), 5);
    assert_eq!(operator.schedule(&mut waker, &vec![Antichain::from_elem(0)]).step, Step::Resume);
    let (reschedule, flushed) = operator.resumed(false);
    assert!(reschedule);
    assert_eq!(flushed, vec![vec![(0, 5)]]);
    // An invocation that leaves the task alone flushes the outputs itself.
    operator.output(0).give(&Capability::new(0, 0), 6);
    let done = operator.schedule(&mut waker, &vec![Antichain::from_elem(0)]);
    assert_eq!(done.step, Step::Done { reschedule: true });
    assert_eq!(done.flushed, Some(vec![vec![(0, 6)]]));
    let done = operator.schedule(&mut waker, &vec![Antichain::from_elem(0)]);
    assert_eq!(done.flushed, Some(vec![vec![]]));
    assert_eq!(operator.output(0).cease(), vec![]);
}

#[test]
fn completed_task_stops_without_the_other_workers() {
    let mut op: OperatorBuilder<AsyncInputHandle<ConnectedToOne, Vec<u64>>, u64> =
        OperatorBuilder::new("voluntary".to_string(), 3);
    let output = op.new_output();
    op.new_input_for(&output);
    let built = op.build();
    let (mut operator, mut waker) = (built.operator, built.waker);
    operator.input(0).deliver(InputCapability::new(0), vec![1]);
    assert_eq!(operator.schedule(&mut waker, &vec![Antichain::from_elem(0)]).step, Step::Resume);
    // The task completes without having taken its input. Nobody has
    // pressed a button.
    let (reschedule, _) = operator.resumed(true);
    assert!(!reschedule);
    assert_eq!(operator.driver_state(), DriverState::Stopped);
    assert!(operator.input(0).next_sync().is_none());
    // Scheduled again, it goes on draining and asks to be left alone.
    operator.input(0).deliver(InputCapability::new(0), vec![2]);
    assert_eq!(
        operator.schedule(&mut waker, &vec![Antichain::from_elem(1)]).step,
        Step::Done { reschedule: false }
    );
    assert!(operator.input(0).next_sync().is_none());
    assert_eq!(operator.frontier(0), vec![1]);
}

#[test]
fn pressed_worker_waits_for_all_workers_before_it_stops() {
    let mut op: OperatorBuilder<AsyncInputHandle<ConnectedToOne, Vec<u64>>, u64> =
        OperatorBuilder::new("barrier".to_string(), 3);
    let output = op.new_output();
    op.new_input_for(&output);
    let built = op.build();
    let (mut operator, mut waker, mut button) = (built.operator, built.waker, built.button);
    assert_eq!(operator.press(&mut button), 3);
    operator.input(0).deliver(InputCapability::new(0), vec![1]);
    // Own press only: the task is not resumed although it is ready, and
    // input is still taken in.
    assert_eq!(
        operator.schedule(&mut waker, &vec![Antichain::from_elem(0)]).step,
        Step::Done { reschedule: true }
    );
    assert_eq!(operator.driver_state(), DriverState::Running);
    assert_eq!(operator.input(0).size_hint(), (1, None));
    assert!(operator.deliver_press());
    assert!(operator.deliver_press());
    assert_eq!(
        operator.schedule(&mut waker, &vec![Antichain::from_elem(0)]).step,
        Step::Done { reschedule: true }
    );
    assert!(operator.deliver_press());
    // No more broadcasts are taken than there are workers.
    assert!(!operator.deliver_press());
    operator.input(0).deliver(InputCapability::new(0), vec![2]);
    assert_eq!(
        operator.schedule(&mut waker, &vec![Antichain::from_elem(0)]).step,
        Step::Done { reschedule: false }
    );
    assert_eq!(operator.driver_state(), DriverState::Stopped);
    assert_eq!(operator.input(0).size_hint(), (0, None));
}

#[test]
fn broadcasts_of_others_do_not_stop_a_worker_that_has_not_pressed() {
    let mut op: OperatorBuilder<AsyncInputHandle<ConnectedToOne, Vec<u64>>, u64> =
        OperatorBuilder::new("barrier".to_string(), 2);
    let output = op.new_output();
    op.new_input_for(&output);
    let built = op.build();
    let (mut operator, mut waker) = (built.operator, built.waker);
    assert!(operator.deliver_press());
    assert!(operator.deliver_press());
    assert_eq!(operator.schedule(&mut waker, &vec![Antichain::from_elem(0)]).step, Step::Resume);
    assert!(operator.resumed(false).0);
    assert_eq!(operator.driver_state(), DriverState::Running);
}

#[test]
fn single_worker_stops_at_the_check_after_its_press() {
    let (mut operator, mut waker) = single_input();
    let mut op: OperatorBuilder<AsyncInputHandle<ConnectedToOne, Vec<u64>>, u64> =
        OperatorBuilder::new("alone".to_string(), 1);
    op.new_output();
    let built = op.build();
    let (mut alone, mut alone_waker, mut button) = (built.operator, built.waker, built.button);
    let broadcasts = alone.press(&mut button);
    assert_eq!(broadcasts, 1);
    assert!(alone.deliver_press());
    assert_eq!(alone.schedule(&mut alone_waker, &vec![]).step, Step::Done { reschedule: false });
    assert_eq!(alone.driver_state(), DriverState::Stopped);
    // An operator whose button is not pressed goes on.
    assert_eq!(operator.schedule(&mut waker, &vec![Antichain::from_elem(0)]).step, Step::Resume);
}

#[test]
fn resumed_task_has_its_outputs_flushed_at_the_end_of_the_resume() {
    let (mut operator, mut waker) = single_input();
    operator.output(0).give(&Capability::new(0, 0), 1);
    let done = operator.schedule(&mut waker, &vec![Antichain::from_elem(0)]);
    assert_eq!(done.step, Step::Resume);
    // Nothing is flushed yet: the task may still emit.
    assert_eq!(done.flushed, None);
    operator.output(0).give(&Capability::new(0, 0), 2);
    let (_, flushed) = operator.resumed(false);
    assert_eq!(flushed, vec![vec![(0, 1), (0, 2)]]);
}

#[test]
fn operator_whose_task_is_gone_still_flushes() {
    let (mut operator, mut waker) = single_input();
    assert_eq!(operator.schedule(&mut waker, &vec![Antichain::from_elem(0)]).step, Step::Resume);
    assert!(!operator.resumed(true).0);
    operator.output(0).give(&Capability::new(0, 0), 3);
    let done = operator.schedule(&mut waker, &vec![Antichain::from_elem(0)]);
    assert_eq!(done.step, Step::Done { reschedule: false });
    assert_eq!(done.flushed, Some(vec![vec![(0, 3)]]));
}

#[test]
fn pressed_worker_returns_before_it_gets_to_the_outputs() {
    let mut op: OperatorBuilder<AsyncInputHandle<ConnectedToOne, Vec<u64>>, u64> =
        OperatorBuilder::new("barrier".to_string(), 2);
    let output = op.new_output();
    op.new_input_for(&output);
    let built = op.build();
    let (mut operator, mut waker, mut button) = (built.operator, built.waker, built.button);
    operator.output(0).give(&Capability::new(0, 0), 4);
    assert_eq!(operator.press(&mut button), 2);
    // Waiting for the other worker: the outputs are left as they are.
    let done = operator.schedule(&mut waker, &vec![Antichain::from_elem(0)]);
    assert_eq!(done.step, Step::Done { reschedule: true });
    assert_eq!(done.flushed, None);
    assert!(operator.deliver_press());
    assert!(operator.deliver_press());
    // Stopping on the button: the same.
    let done = operator.schedule(&mut waker, &vec![Antichain::from_elem(0)]);
    assert_eq!(done.step, Step::Done { reschedule: false });
    assert_eq!(done.flushed, None);
    assert_eq!(operator.output(0).cease(), vec![(0, 4)]);
}
