use std::sync::atomic::{AtomicUsize, Ordering};
use std::sync::Arc;
use std::task::{Wake, Waker};
use sveltum::queue::WakerQueue;
use sveltum::runtime::{
    invoked, main_module_path, received, start_continues, turn_continues, Incoming, IntakeStep,
    Polled, StartFailure, StartStage, StartStep, TurnState, TurnStep,
};

struct Counter(AtomicUsize);

impl Wake for Counter {
    fn wake(self: Arc<Self>) {
        self.0.fetch_add(1, Ordering::SeqCst);
    }
}

#[test]
fn items_leave_in_the_order_in_which_they_came() {
    let mut queue: WakerQueue<u32> = WakerQueue::default();
    assert_eq!(queue.next(), None);
    queue.push(1);
    queue.push(2);
    assert_eq!(queue.next(), Some(1));
    queue.push(3);
    assert_eq!(queue.next(), Some(2));
    assert_eq!(queue.next(), Some(3));
    assert_eq!(queue.next(), None);
}

#[test]
fn a_waiting_task_is_woken_once() {
    let counter = Arc::new(Counter(AtomicUsize::new(0)));
    let waker = Waker::from(counter.clone());
    let mut queue: WakerQueue<u32> = WakerQueue::default();
    queue.push(1);
    assert_eq!(counter.0.load(Ordering::SeqCst), 0);
    queue.set_waker(&waker);
    queue.push(2);
    assert_eq!(counter.0.load(Ordering::SeqCst), 1);
    queue.push(3);
    assert_eq!(counter.0.load(Ordering::SeqCst), 1);
    queue.set_waker(&waker);
    assert_eq!(queue.next(), Some(1));
    queue.push(4);
    assert_eq!(counter.0.load(Ordering::SeqCst), 2);
}

#[test]
fn the_waiting_task_is_handed_out() {
    let counter = Arc::new(Counter(AtomicUsize::new(0)));
    let waker = Waker::from(counter.clone());
    let mut queue: WakerQueue<u32> = WakerQueue::default();
    assert!(queue.enqueue(1).is_none());
    queue.set_waker(&waker);
    assert!(queue.enqueue(2).unwrap().will_wake(&waker));
    assert!(queue.enqueue(3).is_none());
    assert_eq!(counter.0.load(Ordering::SeqCst), 0);
}

#[test]
fn the_last_task_that_waits_is_woken() {
    let first = Arc::new(Counter(AtomicUsize::new(0)));
    let last = Arc::new(Counter(AtomicUsize::new(0)));
    let mut queue: WakerQueue<u32> = WakerQueue::default();
    queue.set_waker(&Waker::from(first.clone()));
    queue.set_waker(&Waker::from(last.clone()));
    assert_eq!(queue.next(), None);
    queue.push(1);
    queue.push(2);
    assert_eq!(first.0.load(Ordering::SeqCst), 0);
    assert_eq!(last.0.load(Ordering::SeqCst), 1);
    assert_eq!(queue.next(), Some(1));
    assert_eq!(queue.next(), Some(2));
}

#[test]
fn failures_of_the_start_have_messages() {
    assert_eq!(StartFailure::ModulePath.message(), Some("invalid main module path"));
    assert_eq!(StartFailure::Runtime.message(), None);
    assert_eq!(StartFailure::Init.message(), None);
}

#[test]
fn a_server_starts_step_by_step() {
    let mut stage = StartStage::BuildRuntime;
    let mut stages = vec![stage];
    while let StartStep::Continue { stage: next } = start_continues(stage, true) {
        stage = next;
        stages.push(stage);
    }
    assert_eq!(
        stages,
        vec![
            StartStage::BuildRuntime,
            StartStage::ResolveModule,
            StartStage::InitServer,
            StartStage::Announce,
        ]
    );
    assert_eq!(start_continues(StartStage::Announce, true), StartStep::Run);
}

#[test]
fn failures_of_the_start_are_reported() {
    let failure = |stage| start_continues(stage, false);
    assert_eq!(
        failure(StartStage::BuildRuntime),
        StartStep::Report { failure: StartFailure::Runtime }
    );
    assert_eq!(
        failure(StartStage::ResolveModule),
        StartStep::Report { failure: StartFailure::ModulePath }
    );
    assert_eq!(
        failure(StartStage::InitServer),
        StartStep::Report { failure: StartFailure::Init }
    );
    assert_eq!(failure(StartStage::Announce), StartStep::Stop);
}

#[test]
fn the_main_module() {
    assert_eq!(main_module_path().segments, vec!["index.js"]);
}

fn turn(tasks: Polled, events: Polled, tasks_again: Polled) -> TurnStep {
    let mut state = TurnState::Tasks;
    loop {
        let polled = match state {
            TurnState::Tasks => tasks,
            TurnState::Events => events,
            TurnState::TasksAgain => tasks_again,
        };
        match turn_continues(state, polled) {
            TurnStep::Poll { state: next } => state = next,
            step => return step,
        }
    }
}

#[test]
fn turns_of_the_loop() {
    assert_eq!(turn(Polled::Ready, Polled::Pending, Polled::Pending), TurnStep::Finish);
    assert_eq!(turn(Polled::Pending, Polled::Pending, Polled::Ready), TurnStep::Wait);
    assert_eq!(turn(Polled::Pending, Polled::Failed, Polled::Pending), TurnStep::Finish);
    assert_eq!(turn(Polled::Pending, Polled::Ready, Polled::Pending), TurnStep::Wait);
    assert_eq!(turn(Polled::Pending, Polled::Ready, Polled::Ready), TurnStep::Finish);
}

#[test]
fn requests_are_taken_in() {
    assert_eq!(received(Incoming::Request), IntakeStep::Invoke);
    assert_eq!(received(Incoming::Nothing), IntakeStep::Wait);
    assert_eq!(received(Incoming::Closed), IntakeStep::Wait);
    assert_eq!(invoked(true), IntakeStep::Follow);
    assert_eq!(invoked(false), IntakeStep::Refuse);
}
