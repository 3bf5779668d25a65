use crate::future::{Future, PollState};
use crate::waker::Waker;
use std::collections::HashMap;
use std::sync::mpsc::{Receiver, Sender};
use vstd::prelude::*;

verus! {

broadcast use vstd::std_specs::hash::group_hash_axioms;

/// Relies on `Receiver::try_iter`: hands over, without blocking, the ids already waiting on the
/// channel. Which ids have arrived depends on other threads, so nothing is said of them.
#[verifier::external_body]
fn pending_wakes(r: &Receiver<usize>) -> (ids: Vec<usize>) {
    r.try_iter().collect()
}

/// Relies on `Receiver::recv`: blocks until an id arrives on the channel, or gives `None` once
/// every sending end is gone.
#[verifier::external_body]
fn recv_wake(r: &Receiver<usize>) -> (id: Option<usize>) {
    r.recv().ok()
}

/// The ready queue after `id` was made ready: a wake of a task that is already queued
/// coalesces with the queued entry.
pub open spec fn enqueued(q: Seq<usize>, id: usize) -> Seq<usize> {
    if q.contains(id) {
        q
    } else {
        q.push(id)
    }
}

/// The ready queue after each id of `ids` was made ready, in order.
pub open spec fn enqueued_all(q: Seq<usize>, ids: Seq<usize>) -> Seq<usize>
    decreases ids.len(),
{
    if ids.len() == 0 {
        q
    } else {
        enqueued(enqueued_all(q, ids.drop_last()), ids.last())
    }
}

/// The order in which one round of the scheduling loop polls the ready queue `q`: the
/// last-queued id first, skipping ids with no task in `live`.
pub open spec fn lifo_order(q: Seq<usize>, live: Set<usize>) -> Seq<usize>
    decreases q.len(),
{
    if q.len() == 0 {
        Seq::empty()
    } else {
        let rest = lifo_order(q.subrange(1, q.len() as int), live);
        if live.contains(q[0]) {
            rest.push(q[0])
        } else {
            rest
        }
    }
}

proof fn lemma_lifo_order_len(q: Seq<usize>, live: Set<usize>)
    ensures
        lifo_order(q, live).len() <= q.len(),
    decreases q.len(),
{
    if q.len() > 0 {
        lemma_lifo_order_len(q.subrange(1, q.len() as int), live);
    }
}

/// What one step of the scheduling loop did with a popped id.
pub enum TaskPoll {
    /// No task has the id: a wake for a task that has resolved, which is ignored.
    Missing,
    /// The task was polled and resolved; it has left the table.
    Resolved,
    /// The task was polled, returned `NotReady` and is back in the table.
    Pending,
}

proof fn lemma_push_contains(s: Seq<usize>, v: usize, x: usize)
    ensures
        s.push(v).contains(x) <==> (s.contains(x) || v == x),
{
    if s.contains(x) {
        let k = choose|k: int| 0 <= k < s.len() && s[k] == x;
        assert(s.push(v)[k] == x);
    }
    if v == x {
        assert(s.push(v)[s.len() as int] == x);
    }
    if s.push(v).contains(x) {
        let k = choose|k: int| 0 <= k < s.len() + 1 && s.push(v)[k] == x;
        if k < s.len() {
            assert(s[k] == x);
        }
    }
}

proof fn lemma_subrange_extend_contains(s: Seq<usize>, lo: int, hi: int, x: usize)
    requires
        0 < lo <= hi <= s.len(),
    ensures
        s.subrange(lo - 1, hi).contains(x) <==> (s.subrange(lo, hi).contains(x) || s[lo - 1]
            == x),
{
    let a = s.subrange(lo - 1, hi);
    let b = s.subrange(lo, hi);
    if b.contains(x) {
        let k = choose|k: int| 0 <= k < b.len() && b[k] == x;
        assert(a[k + 1] == x);
    }
    if s[lo - 1] == x {
        assert(a[0] == x);
    }
    if a.contains(x) {
        let k = choose|k: int| 0 <= k < a.len() && a[k] == x;
        if k > 0 {
            assert(b[k - 1] == x);
        }
    }
}

proof fn lemma_enqueued_all_nonempty(q: Seq<usize>, ids: Seq<usize>)
    requires
        ids.len() > 0,
    ensures
        enqueued_all(q, ids).len() > 0,
{
    let pre = enqueued_all(q, ids.drop_last());
    lemma_push_contains(pre, ids.last(), ids.last());
    if pre.contains(ids.last()) {
        assert(pre.len() > 0);
    }
}

/// A cooperative scheduler for the tasks of one thread.
///
/// It owns a table of pending tasks keyed by id, a LIFO queue of ids to poll, and the
/// counter that hands out task ids. Wakers hand ids back through a channel, which the
/// executor moves into its ready queue.
pub struct Executor<F> {
    tasks: HashMap<usize, F>,
    ready_queue: Vec<usize>,
    next_id: usize,
    sender: Sender<usize>,
    inbox: Receiver<usize>,
    finished: Ghost<Set<usize>>,
    polls: Ghost<Seq<usize>>,
}

impl<F: Future> Executor<F> {
    /// The pending tasks, by id.
    pub closed spec fn tasks(&self) -> Map<usize, F> {
        self.tasks@
    }

    /// The ids waiting to be polled; the last one is polled first.
    pub closed spec fn ready(&self) -> Seq<usize> {
        self.ready_queue@
    }

    /// The id that the next spawned task receives.
    pub closed spec fn next(&self) -> usize {
        self.next_id
    }

    /// The wake channel that this executor's wakers send on.
    pub closed spec fn channel(&self) -> Sender<usize> {
        self.sender
    }

    /// The ids of the tasks that have resolved.
    pub closed spec fn finished(&self) -> Set<usize> {
        self.finished@
    }

    /// Every poll of a task so far, by task id, in order.
    pub closed spec fn poll_log(&self) -> Seq<usize> {
        self.polls@
    }

    /// The executor's invariant: the ready queue holds each id at most once, every id below
    /// the counter belongs to a task that is pending or has resolved, and a resolved task
    /// was polled.
    pub closed spec fn wf(&self) -> bool {
        &&& self.ready_queue@.no_duplicates()
        &&& forall|id: usize| #[trigger] self.tasks@.contains_key(id) ==> id < self.next_id
        &&& forall|id: usize|
            id < self.next_id ==> #[trigger] self.tasks@.contains_key(id)
                || self.finished@.contains(id)
        &&& forall|id: usize| #[trigger]
            self.finished@.contains(id) ==> id < self.next_id && !self.tasks@.contains_key(id)
                && self.polls@.contains(id)
    }

    /// The state between taking task `id` out of the table and filing it again: the
    /// invariant holds for every other id, and `id` is below the counter, out of the table
    /// and not resolved.
    pub closed spec fn taken(&self, id: usize) -> bool {
        &&& self.ready_queue@.no_duplicates()
        &&& forall|x: usize| #[trigger] self.tasks@.contains_key(x) ==> x < self.next_id
        &&& forall|x: usize|
            x < self.next_id && x != id ==> #[trigger] self.tasks@.contains_key(x)
                || self.finished@.contains(x)
        &&& forall|x: usize| #[trigger]
            self.finished@.contains(x) ==> x < self.next_id && !self.tasks@.contains_key(x)
                && self.polls@.contains(x)
        &&& id < self.next_id
        &&& !self.tasks@.contains_key(id)
        &&& !self.finished@.contains(id)
    }

    /// An executor with no tasks, whose first task gets id 0.
    pub fn new() -> (e: Self)
        ensures
            e.wf(),
            e.tasks().is_empty(),
            e.ready().len() == 0,
            e.next() == 0,
            e.finished().is_empty(),
            e.poll_log().len() == 0,
    {
        let (sender, inbox) = std::sync::mpsc::channel();
        Executor {
            tasks: HashMap::new(),
            ready_queue: Vec::new(),
            next_id: 0,
            sender,
            inbox,
            finished: Ghost(Set::empty()),
            polls: Ghost(Seq::empty()),
        }
    }

    /// Makes `id` ready to be polled, unless it is queued already.
    pub fn enqueue(&mut self, id: usize)
        requires
            old(self).wf(),
        ensures
            final(self).wf(),
            final(self).ready() == enqueued(old(self).ready(), id),
            final(self).tasks() == old(self).tasks(),
            final(self).next() == old(self).next(),
            final(self).channel() == old(self).channel(),
            final(self).finished() == old(self).finished(),
            final(self).poll_log() == old(self).poll_log(),
    {
        let mut i: usize = 0;
        let mut found = false;
        while i < self.ready_queue.len()
            invariant
                i <= self.ready_queue.len(),
                found == self.ready_queue@.subrange(0, i as int).contains(id),
            decreases self.ready_queue.len() - i,
        {
            if self.ready_queue[i] == id {
                found = true;
            }
            proof {
                let prefix = self.ready_queue@.subrange(0, i as int);
                assert(self.ready_queue@.subrange(0, i + 1) == prefix.push(
                    self.ready_queue@[i as int],
                ));
                lemma_push_contains(prefix, self.ready_queue@[i as int], id);
            }
            i = i + 1;
        }
        proof {
            assert(self.ready_queue@.subrange(0, i as int) == self.ready_queue@);
        }
        if !found {
            self.ready_queue.push(id);
            proof {
                assert(self.ready_queue@.last() == id);
            }
        }
    }

    /// Adds a task under the next id and queues it, so that it is polled at least once.
    pub fn spawn(&mut self, future: F)
        requires
            old(self).wf(),
            old(self).next() < usize::MAX,
        ensures
            final(self).wf(),
            !old(self).tasks().contains_key(old(self).next()),
            final(self).tasks() == old(self).tasks().insert(old(self).next(), future),
            final(self).ready() == enqueued(old(self).ready(), old(self).next()),
            final(self).ready().contains(old(self).next()),
            final(self).next() == old(self).next() + 1,
            final(self).channel() == old(self).channel(),
            final(self).finished() == old(self).finished(),
            final(self).poll_log() == old(self).poll_log(),
    {
        let id = self.next_id;
        self.tasks.insert(id, future);
        self.next_id = id + 1;
        self.enqueue(id);
        proof {
            if !old(self).ready_queue@.contains(id) {
                assert(self.ready_queue@[old(self).ready_queue@.len() as int] == id);
            }
        }
    }

    /// Takes the most recently readied id off the queue.
    pub fn pop_ready(&mut self) -> (r: Option<usize>)
        requires
            old(self).wf(),
        ensures
            final(self).wf(),
            old(self).ready().len() == 0 ==> r is None && final(self).ready() == old(self).ready(),
            old(self).ready().len() > 0 ==> r == Some(old(self).ready().last())
                && final(self).ready() == old(self).ready().drop_last(),
            final(self).tasks() == old(self).tasks(),
            final(self).next() == old(self).next(),
            final(self).channel() == old(self).channel(),
            final(self).finished() == old(self).finished(),
            final(self).poll_log() == old(self).poll_log(),
    {
        let r = self.ready_queue.pop();
        proof {
            if old(self).ready_queue@.len() > 0 {
                assert(self.ready_queue@ == old(self).ready_queue@.subrange(
                    0,
                    old(self).ready_queue@.len() - 1,
                ));
            }
        }
        r
    }

    /// Takes the task with this id out of the table, to be polled and then filed with
    /// `settle`.
    pub fn get_future(&mut self, id: usize) -> (r: Option<F>)
        requires
            old(self).wf(),
        ensures
            r is None ==> final(self).wf(),
            r is Some ==> final(self).taken(id),
            final(self).tasks() == old(self).tasks().remove(id),
            old(self).tasks().contains_key(id) ==> r == Some(old(self).tasks()[id]),
            !old(self).tasks().contains_key(id) ==> r is None,
            final(self).ready() == old(self).ready(),
            final(self).next() == old(self).next(),
            final(self).channel() == old(self).channel(),
            final(self).finished() == old(self).finished(),
            final(self).poll_log() == old(self).poll_log(),
    {
        self.tasks.remove(&id)
    }

    /// A waker that schedules task `id` on this executor.
    pub fn get_waker(&self, id: usize) -> (w: Waker)
        ensures
            w.task_id() == id,
            w.channel() == self.channel(),
    {
        Waker::new(id, self.sender.clone())
    }

    /// Puts a task into the table under `id` without queueing it.
    fn insert_task(&mut self, id: usize, task: F)
        ensures
            final(self).tasks() == old(self).tasks().insert(id, task),
            final(self).ready() == old(self).ready(),
            final(self).next() == old(self).next(),
            final(self).channel() == old(self).channel(),
            final(self).finished() == old(self).finished(),
            final(self).poll_log() == old(self).poll_log(),
    {
        self.tasks.insert(id, task);
    }

    /// The id that the next spawned task receives; spawning needs it below `usize::MAX`.
    pub fn next_task_id(&self) -> (id: usize)
        ensures
            id == self.next(),
    {
        self.next_id
    }

    /// The number of tasks that have not resolved.
    pub fn task_count(&self) -> (n: usize)
        ensures
            n == self.tasks().len(),
    {
        self.tasks.len()
    }

    /// Files task `id` by what its poll returned: back into the table if `NotReady`, among the
    /// resolved tasks if `Ready`. The task must have been taken out of the table.
    pub fn settle(&mut self, id: usize, task: F, state: &PollState<F::Output>) -> (r: TaskPoll)
        requires
            old(self).taken(id),
            old(self).poll_log().contains(id),
        ensures
            final(self).wf(),
            state is NotReady ==> r is Pending && final(self).tasks() == old(self).tasks().insert(
                id,
                task,
            ) && final(self).finished() == old(self).finished(),
            state is Ready ==> r is Resolved && final(self).tasks() == old(self).tasks()
                && final(self).finished() == old(self).finished().insert(id),
            final(self).ready() == old(self).ready(),
            final(self).next() == old(self).next(),
            final(self).channel() == old(self).channel(),
            final(self).poll_log() == old(self).poll_log(),
    {
        match state {
            PollState::NotReady => {
                self.insert_task(id, task);
                TaskPoll::Pending
            },
            PollState::Ready(_) => {
                self.finished = Ghost(self.finished@.insert(id));
                TaskPoll::Resolved
            },
        }
    }

    /// One step of the scheduling loop: takes task `id` out of the table, polls it with a
    /// fresh waker for `id`, and files it with `settle` by what the poll returned.
    pub fn poll_task(&mut self, id: usize) -> (r: TaskPoll)
        requires
            old(self).wf(),
        ensures
            final(self).wf(),
            (r is Missing) == !old(self).tasks().contains_key(id),
            r is Missing ==> final(self).tasks() == old(self).tasks() && final(self).poll_log()
                == old(self).poll_log() && final(self).finished() == old(self).finished(),
            !(r is Missing) ==> final(self).poll_log() == old(self).poll_log().push(id),
            r is Resolved ==> final(self).tasks() == old(self).tasks().remove(id)
                && final(self).finished() == old(self).finished().insert(id),
            r is Pending ==> final(self).tasks().contains_key(id) && final(self).tasks().remove(id)
                == old(self).tasks().remove(id) && final(self).finished() == old(self).finished(),
            final(self).ready() == old(self).ready(),
            final(self).next() == old(self).next(),
            final(self).channel() == old(self).channel(),
    {
        match self.get_future(id) {
            None => TaskPoll::Missing,
            Some(mut task) => {
                let waker = self.get_waker(id);
                self.polls = Ghost(self.polls@.push(id));
                proof {
                    lemma_push_contains(old(self).polls@, id, id);
                    assert forall|x: usize| #[trigger]
                        self.finished@.contains(x) implies self.polls@.contains(x) by {
                        lemma_push_contains(old(self).polls@, id, x);
                    }
                }
                let state = task.poll(&waker);
                let r = self.settle(id, task, &state);
                proof {
                    assert(self.tasks@.remove(id) == old(self).tasks@.remove(id));
                }
                r
            },
        }
    }

    /// Polls every queued task once, most recently readied first, until the queue is empty.
    /// Returns whether tasks remain pending; they then wait for a waker.
    ///
    /// An id whose task has resolved is skipped. Since the queue holds an id at most once,
    /// no task is polled twice in one call, however often it was woken.
    pub fn run_ready(&mut self) -> (pending: bool)
        requires
            old(self).wf(),
        ensures
            final(self).wf(),
            final(self).ready().len() == 0,
            pending == (final(self).tasks().len() > 0),
            final(self).tasks().dom().subset_of(old(self).tasks().dom()),
            final(self).next() == old(self).next(),
            final(self).channel() == old(self).channel(),
            old(self).poll_log().len() <= final(self).poll_log().len(),
            final(self).poll_log().subrange(0, old(self).poll_log().len() as int) == old(
                self,
            ).poll_log(),
            final(self).poll_log().subrange(
                old(self).poll_log().len() as int,
                final(self).poll_log().len() as int,
            ) == lifo_order(old(self).ready(), old(self).tasks().dom()),
            final(self).poll_log().len() - old(self).poll_log().len() <= old(self).ready().len(),
            final(self).poll_log().subrange(
                old(self).poll_log().len() as int,
                final(self).poll_log().len() as int,
            ).no_duplicates(),
            forall|x: usize|
                #![trigger final(self).poll_log().subrange(
                    old(self).poll_log().len() as int,
                    final(self).poll_log().len() as int,
                ).contains(x)]
                final(self).poll_log().subrange(
                    old(self).poll_log().len() as int,
                    final(self).poll_log().len() as int,
                ).contains(x) <==> (old(self).ready().contains(x) && old(
                    self,
                ).tasks().contains_key(x)),
    {
        let ghost old_ready = self.ready_queue@;
        let ghost old_tasks = self.tasks@;
        let ghost base = self.polls@.len() as int;
        let ghost old_polls = self.polls@;
        proof {
            assert(self.polls@.subrange(0, base) == old_polls);
            assert(old_ready.subrange(0, old_ready.len() as int) == old_ready);
        }
        while self.ready_queue.len() > 0
            invariant
                self.wf(),
                self.next_id == old(self).next_id,
                self.sender == old(self).sender,
                old_ready == old(self).ready_queue@,
                old_ready.no_duplicates(),
                old_tasks == old(self).tasks@,
                base == old(self).polls@.len(),
                old_polls == old(self).polls@,
                self.ready_queue@.len() <= old_ready.len(),
                self.ready_queue@ == old_ready.subrange(0, self.ready_queue@.len() as int),
                base <= self.polls@.len(),
                self.polls@.subrange(0, base) == old_polls,
                self.polls@.subrange(base, self.polls@.len() as int).no_duplicates(),
                self.polls@.subrange(base, self.polls@.len() as int) == lifo_order(
                    old_ready.subrange(self.ready_queue@.len() as int, old_ready.len() as int),
                    old_tasks.dom(),
                ),
                forall|x: usize| #[trigger]
                    self.polls@.subrange(base, self.polls@.len() as int).contains(x) <==> (
                    old_tasks.contains_key(x) && old_ready.subrange(
                        self.ready_queue@.len() as int,
                        old_ready.len() as int,
                    ).contains(x)),
                forall|x: usize| #[trigger]
                    self.tasks@.contains_key(x) ==> old_tasks.contains_key(x),
                forall|i: int|
                    0 <= i < self.ready_queue@.len() ==> (#[trigger] self.tasks@.contains_key(
                        self.ready_queue@[i],
                    ) <==> old_tasks.contains_key(self.ready_queue@[i])),
            decreases self.ready_queue@.len(),
        {
            let ghost r = self.ready_queue@.len() as int;
            let ghost prev = self.polls@;
            let ghost prev_tasks = self.tasks@;
            // The loop condition keeps the queue non-empty, so the pop yields an id.
            let id = match self.pop_ready() {
                Some(id) => id,
                None => 0,
            };
            proof {
                assert(id == old_ready[r - 1]);
                assert(prev_tasks.contains_key(id) == old_tasks.contains_key(id));
            }
            let step = self.poll_task(id);
            proof {
                let new_prev = prev.subrange(base, prev.len() as int);
                let new_now = self.polls@.subrange(base, self.polls@.len() as int);
                assert forall|x: usize|
                    old_ready.subrange(r - 1, old_ready.len() as int).contains(x) <==> (
                    old_ready.subrange(r, old_ready.len() as int).contains(x) || old_ready[r - 1]
                        == x) by {
                    lemma_subrange_extend_contains(old_ready, r, old_ready.len() as int, x);
                }
                // `id` was not popped before: the queue holds it once.
                assert(!old_ready.subrange(r, old_ready.len() as int).contains(id)) by {
                    if old_ready.subrange(r, old_ready.len() as int).contains(id) {
                        let k = choose|k: int|
                            0 <= k < old_ready.len() - r && old_ready.subrange(
                                r,
                                old_ready.len() as int,
                            )[k] == id;
                        assert(old_ready[r + k] == old_ready[r - 1]);
                        assert(false);
                    }
                }
                assert forall|x: usize| #[trigger]
                    self.tasks@.contains_key(x) implies old_tasks.contains_key(x) by {
                    if x != id {
                        assert(self.tasks@.remove(id).contains_key(x));
                        assert(prev_tasks.remove(id).contains_key(x));
                    }
                }
                let sub = old_ready.subrange(r - 1, old_ready.len() as int);
                assert(sub.subrange(1, sub.len() as int) == old_ready.subrange(
                    r,
                    old_ready.len() as int,
                ));
                assert(sub[0] == id);
                if step is Missing {
                    assert(new_now == new_prev);
                } else {
                    assert(new_now == new_prev.push(id));
                    assert(self.polls@.subrange(0, base) == prev.subrange(0, base));
                    assert forall|x: usize| new_now.contains(x) <==> (new_prev.contains(x) || id
                        == x) by {
                        lemma_push_contains(new_prev, id, x);
                    }
                    assert(!new_prev.contains(id));
                    assert(new_now.no_duplicates()) by {
                        assert forall|i: int, j: int|
                            0 <= i < new_now.len() && 0 <= j < new_now.len() && i != j implies
                            new_now[i] != new_now[j] by {
                            if i == new_prev.len() as int {
                                assert(new_prev[j] == new_now[j]);
                            } else if j == new_prev.len() as int {
                                assert(new_prev[i] == new_now[i]);
                            }
                        }
                    }
                }
                assert forall|i: int|
                    0 <= i < self.ready_queue@.len() implies (#[trigger] self.tasks@.contains_key(
                    self.ready_queue@[i],
                ) <==> old_tasks.contains_key(self.ready_queue@[i])) by {
                    assert(self.ready_queue@[i] == old_ready[i]);
                    assert(old_ready[i] != old_ready[r - 1]);
                    assert(prev_tasks.contains_key(self.ready_queue@[i]) <==> old_tasks.contains_key(
                        self.ready_queue@[i],
                    ));
                }
            }
        }
        proof {
            assert(old_ready.subrange(0, old_ready.len() as int) == old_ready);
            assert(self.tasks@.dom().subset_of(old_tasks.dom()));
            lemma_lifo_order_len(old_ready, old_tasks.dom());
        }
        self.tasks.len() > 0
    }

    /// Queues each id of `ids`, in order; an id already queued is not queued twice.
    pub fn wake_all(&mut self, ids: &Vec<usize>)
        requires
            old(self).wf(),
        ensures
            final(self).wf(),
            final(self).ready() == enqueued_all(old(self).ready(), ids@),
            final(self).tasks() == old(self).tasks(),
            final(self).next() == old(self).next(),
            final(self).channel() == old(self).channel(),
            final(self).finished() == old(self).finished(),
            final(self).poll_log() == old(self).poll_log(),
    {
        let mut i: usize = 0;
        while i < ids.len()
            invariant
                i <= ids.len(),
                self.wf(),
                self.ready_queue@ == enqueued_all(old(self).ready_queue@, ids@.subrange(0, i as int)),
                self.tasks@ == old(self).tasks@,
                self.next_id == old(self).next_id,
                self.sender == old(self).sender,
                self.finished@ == old(self).finished@,
                self.polls@ == old(self).polls@,
            decreases ids.len() - i,
        {
            self.enqueue(ids[i]);
            proof {
                let pre = ids@.subrange(0, i + 1);
                assert(pre.drop_last() == ids@.subrange(0, i as int));
                assert(pre.last() == ids@[i as int]);
            }
            i = i + 1;
        }
        proof {
            assert(ids@.subrange(0, i as int) == ids@);
        }
    }

    /// Moves the ids that wakers have sent since the last call into the ready queue, without
    /// blocking, and returns them.
    pub fn deliver_wakes(&mut self) -> (ids: Vec<usize>)
        requires
            old(self).wf(),
        ensures
            final(self).wf(),
            final(self).ready() == enqueued_all(old(self).ready(), ids@),
            final(self).tasks() == old(self).tasks(),
            final(self).next() == old(self).next(),
            final(self).channel() == old(self).channel(),
            final(self).finished() == old(self).finished(),
            final(self).poll_log() == old(self).poll_log(),
    {
        let ids = pending_wakes(&self.inbox);
        self.wake_all(&ids);
        ids
    }

    /// Blocks until some waker of this executor fires, then queues that id and every other
    /// id already sent, and returns them in the order they were sent. Returns `None`, with
    /// nothing queued, only if the channel is closed.
    pub fn wait_for_wake(&mut self) -> (woken: Option<Vec<usize>>)
        requires
            old(self).wf(),
        ensures
            final(self).wf(),
            woken matches Some(ids) ==> ids@.len() > 0 && final(self).ready() == enqueued_all(
                old(self).ready(),
                ids@,
            ) && final(self).ready().len() > 0,
            woken is None ==> final(self).ready() == old(self).ready(),
            final(self).tasks() == old(self).tasks(),
            final(self).next() == old(self).next(),
            final(self).channel() == old(self).channel(),
            final(self).finished() == old(self).finished(),
            final(self).poll_log() == old(self).poll_log(),
    {
        match recv_wake(&self.inbox) {
            None => None,
            Some(id) => {
                let mut ids: Vec<usize> = Vec::new();
                ids.push(id);
                let mut rest = pending_wakes(&self.inbox);
                ids.append(&mut rest);
                self.wake_all(&ids);
                proof {
                    lemma_enqueued_all_nonempty(old(self).ready_queue@, ids@);
                }
                Some(ids)
            },
        }
    }

    /// Files the top-level future of `block_on` by what its first poll returned: if it
    /// resolved, nothing happens (no task is spawned and the ready queue is left alone);
    /// otherwise it is spawned, and `true` is returned.
    pub fn finish_first_poll(&mut self, future: F, first: &PollState<F::Output>) -> (spawned: bool)
        requires
            old(self).wf(),
            old(self).next() < usize::MAX,
        ensures
            final(self).wf(),
            spawned == (first is NotReady),
            first is Ready ==> final(self).tasks() == old(self).tasks() && final(self).ready()
                == old(self).ready() && final(self).next() == old(self).next(),
            first is NotReady ==> final(self).tasks() == old(self).tasks().insert(
                old(self).next(),
                future,
            ) && final(self).ready() == enqueued(old(self).ready(), old(self).next())
                && final(self).next() == old(self).next() + 1,
            !old(self).tasks().contains_key(old(self).next()),
            final(self).finished() == old(self).finished(),
            final(self).poll_log() == old(self).poll_log(),
            final(self).channel() == old(self).channel(),
    {
        match first {
            PollState::Ready(_) => false,
            PollState::NotReady => {
                self.spawn(future);
                true
            },
        }
    }

    /// The start of `block_on`: polls the top-level future once, with a waker for the id it
    /// would get as a task, and files it with `finish_first_poll` by what the poll returned.
    pub fn enter(&mut self, future: F) -> (spawned: bool)
        requires
            old(self).wf(),
            old(self).next() < usize::MAX,
        ensures
            final(self).wf(),
            final(self).poll_log() == old(self).poll_log().push(old(self).next()),
            !old(self).tasks().contains_key(old(self).next()),
            !spawned ==> final(self).tasks() == old(self).tasks() && final(self).ready() == old(
                self,
            ).ready() && final(self).next() == old(self).next() && final(self).finished() == old(
                self,
            ).finished(),
            spawned ==> final(self).tasks().contains_key(old(self).next()) && final(self).tasks().remove(
                old(self).next(),
            ) == old(self).tasks() && final(self).ready() == enqueued(
                old(self).ready(),
                old(self).next(),
            ) && final(self).next() == old(self).next() + 1 && final(self).finished() == old(
                self,
            ).finished(),
            final(self).channel() == old(self).channel(),
    {
        let mut future = future;
        let waker = self.get_waker(self.next_id);
        let ghost id = self.next_id;
        self.polls = Ghost(self.polls@.push(self.next_id));
        proof {
            assert forall|x: usize| #[trigger]
                self.finished@.contains(x) implies self.polls@.contains(x) by {
                lemma_push_contains(old(self).polls@, id, x);
            }
        }
        let first = future.poll(&waker);
        let spawned = self.finish_first_poll(future, &first);
        proof {
            if spawned {
                assert(self.tasks@.remove(id) == old(self).tasks@);
            }
        }
        spawned
    }
}


/// Once no task is pending, every task that the executor ever held has been polled, and has
/// resolved: a drained executor has run every spawned task at least once.
pub proof fn lemma_drained_all_polled<F: Future>(e: &Executor<F>)
    requires
        e.wf(),
        e.tasks().len() == 0,
    ensures
        forall|id: usize|
            id < e.next() ==> #[trigger] e.finished().contains(id) && e.poll_log().contains(id),
{
    assert forall|id: usize| id < e.next() implies #[trigger] e.finished().contains(id)
        && e.poll_log().contains(id) by {
        if e.tasks().contains_key(id) {
            assert(e.tasks().dom().contains(id));
            assert(e.tasks().dom().len() > 0) by {
                vstd::set_lib::lemma_set_empty_equivalency_len(e.tasks().dom());
            }
        }
    }
}

/// A task that has not resolved is in the task table, whatever its last poll returned: the
/// executor never drops a pending task, so a wake for it always finds it.
pub proof fn lemma_unresolved_task_is_in_table<F: Future>(e: &Executor<F>, id: usize)
    requires
        e.wf(),
        id < e.next(),
        !e.finished().contains(id),
    ensures
        e.tasks().contains_key(id),
{
}

/// Waking a task again before it is polled leaves the ready queue as the first wake left
/// it: repeated wakes coalesce into one queue entry.
pub proof fn lemma_wake_coalesces(q: Seq<usize>, id: usize)
    ensures
        enqueued(enqueued(q, id), id) == enqueued(q, id),
        enqueued(q, id).contains(id),
        q.no_duplicates() ==> enqueued(q, id).no_duplicates(),
{
    lemma_push_contains(q, id, id);
    if !q.contains(id) {
        assert(enqueued(q, id).contains(id));
        if q.no_duplicates() {
            assert forall|i: int, j: int|
                0 <= i < q.len() + 1 && 0 <= j < q.len() + 1 && i != j implies q.push(id)[i]
                != q.push(id)[j] by {
                if i == q.len() as int {
                    assert(q.contains(q[j]));
                } else if j == q.len() as int {
                    assert(q.contains(q[i]));
                }
            }
        }
    }
}

} // verus!
