use crate::waker::Waker;
use vstd::prelude::*;

verus! {

/// What one poll of a future yields: its output, or word that it must be polled again later.
pub enum PollState<T> {
    Ready(T),
    NotReady,
}

impl<T> PollState<T> {
    /// True when the poll produced an output.
    pub fn is_ready(&self) -> (r: bool)
        ensures
            r == (self is Ready),
    {
        match self {
            PollState::Ready(_) => true,
            PollState::NotReady => false,
        }
    }
}

/// An operation that completes later, driven forward by calls to `poll`.
///
/// A future that returns `NotReady` must already have handed the waker (or a clone of it)
/// to whatever will signal its progress; once it has returned `Ready` it is not polled again.
pub trait Future {
    type Output;

    fn poll(&mut self, waker: &Waker) -> PollState<Self::Output>;
}


/// How many entries of `flags` are set.
pub open spec fn count_set(flags: Seq<bool>) -> nat
    decreases flags.len(),
{
    if flags.len() == 0 {
        0
    } else {
        count_set(flags.drop_last()) + if flags.last() {
            1nat
        } else {
            0nat
        }
    }
}

proof fn lemma_count_set_bound(flags: Seq<bool>)
    ensures
        count_set(flags) <= flags.len(),
        count_set(flags) == flags.len() <==> forall|i: int| 0 <= i < flags.len() ==> flags[i],
    decreases flags.len(),
{
    if flags.len() > 0 {
        lemma_count_set_bound(flags.drop_last());
        if count_set(flags) == flags.len() {
            assert forall|i: int| 0 <= i < flags.len() implies flags[i] by {
                if i < flags.len() - 1 {
                    assert(flags.drop_last()[i] == flags[i]);
                }
            }
        }
        if forall|i: int| 0 <= i < flags.len() ==> flags[i] {
            assert forall|i: int| 0 <= i < flags.drop_last().len() implies flags.drop_last()[i] by {
                assert(flags[i]);
            }
        }
    }
}

/// The positions of the futures that have not resolved, in order.
pub open spec fn unresolved_indices(flags: Seq<bool>) -> Seq<int>
    decreases flags.len(),
{
    if flags.len() == 0 {
        Seq::empty()
    } else {
        let rest = unresolved_indices(flags.drop_last());
        if flags.last() {
            rest
        } else {
            rest.push(flags.len() - 1)
        }
    }
}

/// A future that polls a set of futures of one type until all of them have resolved, and
/// then resolves to their outputs, in the order in which they resolved.
pub struct JoinAll<F: Future> {
    futures: Vec<(bool, F)>,
    outputs: Vec<F::Output>,
    polls: Ghost<Seq<(int, bool)>>,
}

/// Joins `futures` into one future.
pub fn join_all<F: Future>(futures: Vec<F>) -> (j: JoinAll<F>)
    ensures
        j.flags().len() == futures@.len(),
        forall|i: int| 0 <= i < futures@.len() ==> !j.flags()[i],
        j.held() == 0,
        j.poll_log().len() == 0,
{
    JoinAll::from(futures)
}

impl<F: Future> JoinAll<F> {
    /// Which of the futures have resolved, in the order given.
    pub closed spec fn flags(&self) -> Seq<bool> {
        self.futures@.map_values(|p: (bool, F)| p.0)
    }

    /// How many outputs are held, gathered since the join last resolved.
    pub closed spec fn held(&self) -> nat {
        self.outputs@.len()
    }

    /// Every poll of a joined future so far: its position, and whether it returned `Ready`.
    pub closed spec fn poll_log(&self) -> Seq<(int, bool)> {
        self.polls@
    }

    /// The futures, none resolved yet.
    pub fn from(futures: Vec<F>) -> (j: JoinAll<F>)
        ensures
            j.flags().len() == futures@.len(),
            forall|i: int| 0 <= i < futures@.len() ==> !j.flags()[i],
            j.held() == 0,
            j.poll_log().len() == 0,
    {
        let mut futures = futures;
        let mut slots: Vec<(bool, F)> = Vec::new();
        let ghost n = futures@.len();
        while futures.len() > 0
            invariant
                slots@.len() + futures@.len() == n,
                forall|i: int| 0 <= i < slots@.len() ==> !(#[trigger] slots@[i]).0,
            decreases futures@.len(),
        {
            let f = futures.remove(0);
            slots.push((false, f));
        }
        let j = JoinAll { futures: slots, outputs: Vec::new(), polls: Ghost(Seq::empty()) };
        proof {
            assert forall|i: int| 0 <= i < j.flags().len() implies !j.flags()[i] by {
                assert(!j.futures@[i].0);
            }
        }
        j
    }

    /// Files a future after its poll: resolved exactly when the poll returned `Ready`, whose
    /// output is then held.
    fn place(&mut self, f: F, state: PollState<F::Output>)
        ensures
            final(self).futures@ == old(self).futures@.push((state is Ready, f)),
            state is Ready ==> final(self).held() == old(self).held() + 1,
            state is NotReady ==> final(self).held() == old(self).held(),
            final(self).polls == old(self).polls,
    {
        match state {
            PollState::Ready(v) => {
                self.outputs.push(v);
                self.futures.push((true, f));
            },
            PollState::NotReady => {
                self.futures.push((false, f));
            },
        }
    }

    /// Polls, with `waker`, every future that has not resolved yet, once each and in order;
    /// a future that has resolved is not polled again, and one is marked resolved exactly
    /// when its poll returned `Ready`. Resolves, handing over the outputs held, when every
    /// future has resolved.
    pub fn poll_all(&mut self, waker: &Waker) -> (r: PollState<Vec<F::Output>>)
        ensures
            final(self).flags().len() == old(self).flags().len(),
            old(self).poll_log().len() <= final(self).poll_log().len(),
            final(self).poll_log().subrange(0, old(self).poll_log().len() as int) == old(
                self,
            ).poll_log(),
            final(self).poll_log().subrange(
                old(self).poll_log().len() as int,
                final(self).poll_log().len() as int,
            ).map_values(|p: (int, bool)| p.0) == unresolved_indices(old(self).flags()),
            forall|k: int|
                #![trigger final(self).poll_log()[k]]
                old(self).poll_log().len() <= k < final(self).poll_log().len() ==> final(self).flags()[final(self).poll_log()[k].0] == final(self).poll_log()[k].1,
            forall|i: int|
                #![trigger final(self).flags()[i]]
                0 <= i < old(self).flags().len() && old(self).flags()[i] ==> final(self).flags()[i],
            r is Ready <==> forall|i: int|
                0 <= i < final(self).flags().len() ==> #[trigger] final(self).flags()[i],
            r is NotReady ==> final(self).held() == old(self).held() + count_set(final(self).flags())
                - count_set(old(self).flags()),
            r matches PollState::Ready(v) ==> v@.len() == old(self).held() + count_set(final(self).flags())
                - count_set(old(self).flags()) && final(self).held() == 0,
    {
        let mut pending: Vec<(bool, F)> = Vec::new();
        std::mem::swap(&mut pending, &mut self.futures);
        let ghost before = pending@.map_values(|p: (bool, F)| p.0);
        let ghost n = pending@.len();
        let ghost base = self.polls@.len() as int;
        let ghost held0 = self.outputs@.len() as int;
        let mut count: usize = 0;
        proof {
            assert(before.subrange(0, 0) =~= Seq::<bool>::empty());
            assert(self.polls@.subrange(base, base) =~= Seq::<(int, bool)>::empty());
            assert(self.polls@.subrange(0, base) =~= self.polls@);
        }
        while pending.len() > 0
            invariant
                n == self.futures@.len() + pending@.len(),
                before.len() == n,
                before == old(self).futures@.map_values(|p: (bool, F)| p.0),
                forall|i: int|
                    0 <= i < pending@.len() ==> (#[trigger] pending@[i]).0 == before[i
                        + self.futures@.len()],
                forall|i: int|
                    0 <= i < self.futures@.len() && before[i] ==> (#[trigger] self.futures@[i]).0,
                count == count_set(self.futures@.map_values(|p: (bool, F)| p.0)),
                count <= self.futures@.len(),
                base == old(self).polls@.len(),
                held0 == old(self).outputs@.len(),
                base <= self.polls@.len(),
                self.polls@.subrange(0, base) == old(self).polls@,
                self.polls@.subrange(base, self.polls@.len() as int).map_values(
                    |p: (int, bool)| p.0,
                ) == unresolved_indices(before.subrange(0, self.futures@.len() as int)),
                forall|k: int|
                    base <= k < self.polls@.len() ==> 0 <= #[trigger] self.polls@[k].0
                        < self.futures@.len() && self.futures@[self.polls@[k].0].0
                        == self.polls@[k].1,
                self.outputs@.len() == held0 + count - count_set(
                    before.subrange(0, self.futures@.len() as int),
                ),
            decreases pending@.len(),
        {
            let ghost done_before = self.futures@;
            let ghost pending_before = pending@;
            let ghost polls_before = self.polls@;
            let ghost k = self.futures@.len() as int;
            let (done, mut f) = pending.remove(0);
            if done {
                self.futures.push((true, f));
            } else {
                let state = f.poll(waker);
                let ghost ready = state is Ready;
                self.polls = Ghost(self.polls@.push((k, ready)));
                self.place(f, state);
            }
            let now = self.futures.len() - 1;
            if self.futures[now].0 {
                count = count + 1;
            }
            proof {
                let fl = self.futures@.map_values(|p: (bool, F)| p.0);
                assert(fl.drop_last() =~= done_before.map_values(|p: (bool, F)| p.0));
                assert(fl.last() == self.futures@[now as int].0);
                assert forall|i: int|
                    0 <= i < pending@.len() implies (#[trigger] pending@[i]).0 == before[i
                    + self.futures@.len()] by {
                    assert(pending@[i] == pending_before[i + 1]);
                }
                assert forall|i: int|
                    0 <= i < self.futures@.len() && before[i] implies (#[trigger] self.futures@[i]).0 by {
                    if i < now {
                        assert(self.futures@[i] == done_before[i]);
                    } else {
                        assert(pending_before[0].0 == before[i]);
                    }
                }
                let pre = before.subrange(0, k + 1);
                assert(pre.drop_last() == before.subrange(0, k));
                assert(pre.last() == before[k]);
                assert(pending_before[0].0 == before[k]);
                assert(self.polls@.subrange(0, base) == polls_before.subrange(0, base));
                if done {
                    assert(self.polls@ == polls_before);
                } else {
                    assert(self.polls@.subrange(base, self.polls@.len() as int) == polls_before.subrange(
                        base,
                        polls_before.len() as int,
                    ).push((k, self.polls@.last().1)));
                    assert(self.polls@.subrange(base, self.polls@.len() as int).map_values(
                        |p: (int, bool)| p.0,
                    ) =~= polls_before.subrange(base, polls_before.len() as int).map_values(
                        |p: (int, bool)| p.0,
                    ).push(k));
                }
                assert forall|j: int| base <= j < self.polls@.len() implies 0
                    <= #[trigger] self.polls@[j].0 < self.futures@.len() && self.futures@[self.polls@[
                    j].0].0 == self.polls@[j].1 by {
                    if j < polls_before.len() {
                        assert(self.polls@[j] == polls_before[j]);
                        assert(self.futures@[polls_before[j].0] == done_before[polls_before[j].0]);
                    }
                }
            }
        }
        proof {
            let fl = self.futures@.map_values(|p: (bool, F)| p.0);
            lemma_count_set_bound(fl);
            assert(before.subrange(0, n as int) == before);
            assert forall|i: int|
                0 <= i < old(self).flags().len() && #[trigger] old(self).flags()[i] implies self.flags()[i] by {
                assert(before[i] == old(self).flags()[i]);
                assert(self.futures@[i].0);
            }
            assert forall|i: int| 0 <= i < fl.len() implies fl[i] == self.flags()[i] by {}
            assert(fl == self.flags());
        }
        if count == self.futures.len() {
            let mut outputs: Vec<F::Output> = Vec::new();
            std::mem::swap(&mut outputs, &mut self.outputs);
            PollState::Ready(outputs)
        } else {
            PollState::NotReady
        }
    }
}

impl<F: Future> Future for JoinAll<F> {
    type Output = Vec<F::Output>;

    fn poll(&mut self, waker: &Waker) -> PollState<Vec<F::Output>> {
        self.poll_all(waker)
    }
}

} // verus!
