use reactor_executor::{Executor, Future, PollState, TaskPoll, Waker};
use std::sync::atomic::{AtomicUsize, Ordering};
use std::sync::Arc;

struct Countdown {
    remaining: usize,
    polls: Arc<AtomicUsize>,
    self_wake: bool,
}

impl Countdown {
    fn new(remaining: usize, self_wake: bool) -> (Countdown, Arc<AtomicUsize>) {
        let polls = Arc::new(AtomicUsize::new(0));
        (
            Countdown {
                remaining,
                polls: polls.clone(),
                self_wake,
            },
            polls,
        )
    }
}

impl Future for Countdown {
    type Output = String;

    fn poll(&mut self, waker: &Waker) -> PollState<String> {
        self.polls.fetch_add(1, Ordering::SeqCst);
        if self.remaining == 0 {
            PollState::Ready("done".to_string())
        } else {
            self.remaining -= 1;
            if self.self_wake {
                waker.wake();
            }
            PollState::NotReady
        }
    }
}

fn run(exec: &mut Executor<Countdown>, future: Countdown) -> usize {
    let mut rounds = 0;
    if exec.enter(future) {
        while exec.run_ready() {
            rounds += 1;
            assert!(exec.wait_for_wake().is_some());
        }
    }
    rounds
}

#[test]
fn spawned_tasks_all_polled_before_return() {
    let mut exec = Executor::new();
    let mut counters = Vec::new();
    for n in 0..3 {
        let (f, polls) = Countdown::new(n, true);
        exec.spawn(f);
        counters.push(polls);
    }
    let (top, top_polls) = Countdown::new(1, true);
    run(&mut exec, top);
    assert_eq!(exec.task_count(), 0);
    assert_eq!(counters[0].load(Ordering::SeqCst), 1);
    assert_eq!(counters[1].load(Ordering::SeqCst), 2);
    assert_eq!(counters[2].load(Ordering::SeqCst), 3);
    assert_eq!(top_polls.load(Ordering::SeqCst), 2);
}

#[test]
fn ready_on_first_poll_is_never_spawned() {
    let mut exec = Executor::new();
    let (f, polls) = Countdown::new(0, false);
    assert!(!exec.enter(f));
    assert_eq!(polls.load(Ordering::SeqCst), 1);
    assert_eq!(exec.task_count(), 0);
    assert_eq!(exec.pop_ready(), None);
    // the id counter was not advanced: the next task still gets id 0
    let (g, _) = Countdown::new(0, false);
    exec.spawn(g);
    assert_eq!(exec.pop_ready(), Some(0));
}

#[test]
fn not_ready_task_stays_in_table() {
    let mut exec = Executor::new();
    let (f, polls) = Countdown::new(2, false);
    exec.spawn(f);
    assert_eq!(exec.pop_ready(), Some(0));
    assert!(matches!(exec.poll_task(0), TaskPoll::Pending));
    assert_eq!(exec.task_count(), 1);
    assert!(matches!(exec.poll_task(0), TaskPoll::Pending));
    assert!(matches!(exec.poll_task(0), TaskPoll::Resolved));
    assert_eq!(exec.task_count(), 0);
    assert!(matches!(exec.poll_task(0), TaskPoll::Missing));
    assert_eq!(polls.load(Ordering::SeqCst), 3);
}

#[test]
fn repeated_wakes_poll_once() {
    let mut exec = Executor::new();
    let (f, polls) = Countdown::new(5, false);
    exec.spawn(f);
    let waker = exec.get_waker(0);
    assert_eq!(waker.id(), 0);
    waker.wake();
    waker.clone().wake();
    assert_eq!(exec.deliver_wakes(), vec![0, 0]);
    assert!(exec.run_ready());
    assert_eq!(polls.load(Ordering::SeqCst), 1);
    assert_eq!(exec.pop_ready(), None);
}

#[test]
fn spurious_wake_is_ignored() {
    let mut exec: Executor<Countdown> = Executor::new();
    exec.get_waker(42).wake();
    assert_eq!(exec.wait_for_wake(), Some(vec![42]));
    assert!(!exec.run_ready());
    assert_eq!(exec.task_count(), 0);
}

#[test]
fn ready_queue_is_lifo() {
    let mut exec = Executor::new();
    for _ in 0..3 {
        let (f, _) = Countdown::new(1, false);
        exec.spawn(f);
    }
    exec.wake_all(&vec![1, 0]);
    assert_eq!(exec.pop_ready(), Some(2));
    assert_eq!(exec.pop_ready(), Some(1));
    assert_eq!(exec.pop_ready(), Some(0));
    assert_eq!(exec.pop_ready(), None);
}

#[test]
fn enqueue_coalesces() {
    let mut exec: Executor<Countdown> = Executor::new();
    exec.enqueue(4);
    exec.enqueue(4);
    exec.enqueue(2);
    assert_eq!(exec.pop_ready(), Some(2));
    assert_eq!(exec.pop_ready(), Some(4));
    assert_eq!(exec.pop_ready(), None);
}

#[test]
fn block_on_parks_until_woken() {
    let mut exec = Executor::new();
    let (f, polls) = Countdown::new(3, true);
    let rounds = run(&mut exec, f);
    assert_eq!(polls.load(Ordering::SeqCst), 4);
    // the wake from the first poll coalesces with the entry that spawning queued
    assert_eq!(rounds, 2);
}

#[test]
fn settle_files_by_poll_result() {
    let mut exec = Executor::new();
    let (a, _) = Countdown::new(1, false);
    let (b, _) = Countdown::new(1, false);
    exec.spawn(a);
    exec.spawn(b);
    let task = exec.get_future(0).unwrap();
    assert!(matches!(
        exec.settle(0, task, &PollState::NotReady),
        TaskPoll::Pending
    ));
    assert_eq!(exec.task_count(), 2);
    let task = exec.get_future(1).unwrap();
    assert!(matches!(
        exec.settle(1, task, &PollState::Ready("x".to_string())),
        TaskPoll::Resolved
    ));
    assert_eq!(exec.task_count(), 1);
    assert!(exec.get_future(1).is_none());
}

#[test]
fn first_poll_result_decides_spawn() {
    let mut exec = Executor::new();
    let (a, _) = Countdown::new(0, false);
    assert!(!exec.finish_first_poll(a, &PollState::Ready("x".to_string())));
    assert_eq!(exec.task_count(), 0);
    assert_eq!(exec.pop_ready(), None);
    assert_eq!(exec.next_task_id(), 0);
    let (b, _) = Countdown::new(0, false);
    assert!(exec.finish_first_poll(b, &PollState::NotReady));
    assert_eq!(exec.task_count(), 1);
    assert_eq!(exec.next_task_id(), 1);
    assert_eq!(exec.pop_ready(), Some(0));
}

#[test]
fn round_polls_last_queued_first() {
    let order = Arc::new(std::sync::Mutex::new(Vec::new()));
    let mut exec: Executor<Tagged> = Executor::new();
    for tag in 0..3 {
        exec.spawn(Tagged { tag, order: order.clone() });
    }
    assert!(exec.run_ready());
    assert_eq!(*order.lock().unwrap(), vec![2, 1, 0]);
}

struct Tagged {
    tag: usize,
    order: Arc<std::sync::Mutex<Vec<usize>>>,
}

impl Future for Tagged {
    type Output = String;

    fn poll(&mut self, _waker: &Waker) -> PollState<String> {
        self.order.lock().unwrap().push(self.tag);
        PollState::NotReady
    }
}
