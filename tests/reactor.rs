use reactor_executor::{init, join_all, Executor, Future, PollState, Reactor, Waker};
use std::sync::atomic::{AtomicBool, AtomicUsize, Ordering};
use std::sync::{Arc, Mutex};

struct Idle;

impl Future for Idle {
    type Output = String;

    fn poll(&mut self, _waker: &Waker) -> PollState<String> {
        PollState::NotReady
    }
}

#[test]
fn tokens_are_fresh() {
    let mut r = Reactor::new();
    assert_eq!(r.next_id(), 1);
    assert_eq!(r.next_id(), 2);
    assert_eq!(r.next_id(), 3);
}

#[test]
fn latest_waker_is_invoked() {
    let mut r = Reactor::new();
    let mut first: Executor<Idle> = Executor::new();
    let mut second: Executor<Idle> = Executor::new();
    let token = r.next_id();
    r.set_waker(&first.get_waker(7), token);
    r.set_waker(&second.get_waker(9), token);
    assert_eq!(r.wake(token), Some(9));
    assert_eq!(second.deliver_wakes(), vec![9]);
    assert_eq!(first.deliver_wakes(), Vec::<usize>::new());
}

#[test]
fn deregistered_token_is_ignored() {
    let mut r = Reactor::new();
    let mut exec: Executor<Idle> = Executor::new();
    let token = r.next_id();
    r.set_waker(&exec.get_waker(3), token);
    r.deregister(token);
    assert_eq!(r.wake(token), None);
    assert_eq!(r.dispatch(&vec![token, token]), Vec::<usize>::new());
    assert_eq!(exec.deliver_wakes(), Vec::<usize>::new());
}

#[test]
fn dispatch_wakes_in_event_order() {
    let mut r = Reactor::new();
    let mut exec: Executor<Idle> = Executor::new();
    let a = r.next_id();
    let b = r.next_id();
    r.set_waker(&exec.get_waker(10), a);
    r.set_waker(&exec.get_waker(20), b);
    assert_eq!(r.dispatch(&vec![b, 99, a]), vec![20, 10]);
    assert_eq!(exec.deliver_wakes(), vec![20, 10]);
}

#[test]
fn init_gives_fresh_state() {
    let (mut reactor, exec) = init::<Idle>();
    assert_eq!(reactor.next_id(), 1);
    assert_eq!(exec.task_count(), 0);
}

/// A leaf future whose readiness event is a simulated response, `delay` ms after its
/// request; the test delivers the events in the order their delays give.
struct Delayed {
    delay: u64,
    token: Option<usize>,
    fired: Arc<AtomicBool>,
    reactor: Arc<Mutex<Reactor>>,
    polls: Arc<AtomicUsize>,
    tokens: Arc<Mutex<Vec<(u64, usize)>>>,
}

impl Future for Delayed {
    type Output = String;

    fn poll(&mut self, waker: &Waker) -> PollState<String> {
        self.polls.fetch_add(1, Ordering::SeqCst);
        let token = match self.token {
            Some(t) => t,
            None => {
                let t = self.reactor.lock().unwrap().next_id();
                self.token = Some(t);
                self.tokens.lock().unwrap().push((self.delay, t));
                t
            }
        };
        if self.fired.load(Ordering::SeqCst) {
            self.reactor.lock().unwrap().deregister(token);
            PollState::Ready(format!("{}ms", self.delay))
        } else {
            self.reactor.lock().unwrap().set_waker(waker, token);
            PollState::NotReady
        }
    }
}

fn two_leaf_tasks(first_delay: u64, second_delay: u64) {
    let reactor = Arc::new(Mutex::new(Reactor::new()));
    let tokens = Arc::new(Mutex::new(Vec::new()));
    let mut exec = Executor::new();
    let mut fired = Vec::new();
    let mut leaves = Vec::new();
    for delay in [first_delay, second_delay] {
        let flag = Arc::new(AtomicBool::new(false));
        fired.push((delay, flag.clone()));
        leaves.push(Delayed {
            delay,
            token: None,
            fired: flag,
            reactor: reactor.clone(),
            polls: Arc::new(AtomicUsize::new(0)),
            tokens: tokens.clone(),
        });
    }
    let second = leaves.pop().unwrap();
    let first = leaves.pop().unwrap();
    let first_polls = first.polls.clone();
    exec.spawn(first);
    assert!(exec.enter(second));
    let mut rounds = 0;
    while exec.run_ready() {
        rounds += 1;
        // the executor would park here: deliver the earliest outstanding response
        let mut pending = tokens.lock().unwrap().clone();
        pending.sort();
        let (delay, token) = pending[rounds - 1];
        for (d, flag) in fired.iter() {
            if *d == delay {
                flag.store(true, Ordering::SeqCst);
            }
        }
        assert_eq!(reactor.lock().unwrap().dispatch(&vec![token]).len(), 1);
        assert!(exec.wait_for_wake().is_some());
    }
    assert_eq!(rounds, 2);
    assert!(fired.iter().all(|(_, f)| f.load(Ordering::SeqCst)));
    assert_eq!(exec.task_count(), 0);
    assert_eq!(first_polls.load(Ordering::SeqCst), 2);
}

#[test]
fn two_leaf_tasks_complete_before_return() {
    two_leaf_tasks(400, 600);
    two_leaf_tasks(600, 400);
}

struct Steps(usize, &'static str);

impl Future for Steps {
    type Output = &'static str;

    fn poll(&mut self, _waker: &Waker) -> PollState<&'static str> {
        if self.0 == 0 {
            PollState::Ready(self.1)
        } else {
            self.0 -= 1;
            PollState::NotReady
        }
    }
}

#[test]
fn join_all_resolves_when_all_resolved() {
    let exec: Executor<Idle> = Executor::new();
    let waker = exec.get_waker(0);
    let mut joined = join_all(vec![Steps(1, "slow"), Steps(0, "fast")]);
    assert!(matches!(joined.poll(&waker), PollState::NotReady));
    match joined.poll(&waker) {
        PollState::Ready(outs) => assert_eq!(outs, vec!["fast", "slow"]),
        PollState::NotReady => panic!("expected both futures resolved"),
    }
    assert!(joined.poll(&waker).is_ready());
}

#[test]
fn join_all_of_nothing_is_ready() {
    let exec: Executor<Idle> = Executor::new();
    let waker = exec.get_waker(0);
    let mut joined = join_all(Vec::<Steps>::new());
    assert!(joined.poll(&waker).is_ready());
}
