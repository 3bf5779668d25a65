use crate::waker::Waker;
use std::collections::HashMap;
use vstd::prelude::*;

verus! {

broadcast use vstd::std_specs::hash::group_hash_axioms;

/// The waker that a readiness event for `token` invokes, given the stored wakers.
pub open spec fn target(wakers: Map<usize, Waker>, token: usize) -> Option<Waker> {
    if wakers.contains_key(token) {
        Some(wakers[token])
    } else {
        None
    }
}

/// The task ids that a batch of readiness events wakes, in event order; an event whose
/// token has no waker wakes nothing.
pub open spec fn woken_ids(wakers: Map<usize, Waker>, tokens: Seq<usize>) -> Seq<usize>
    decreases tokens.len(),
{
    if tokens.len() == 0 {
        Seq::empty()
    } else {
        let rest = woken_ids(wakers, tokens.drop_last());
        match target(wakers, tokens.last()) {
            Some(w) => rest.push(w.task_id()),
            None => rest,
        }
    }
}

/// The reactor's bookkeeping: the waker stored for each registered token, and the
/// allocator of fresh tokens.
///
/// One reactor serves every executor of a process; its owner shares it behind a lock
/// between the event-loop thread and the tasks that register interest.
pub struct Reactor {
    wakers: HashMap<usize, Waker>,
    next_id: usize,
}

impl Reactor {
    /// The waker stored for each token.
    pub closed spec fn wakers(&self) -> Map<usize, Waker> {
        self.wakers@
    }

    /// The token that `next_id` hands out next.
    pub closed spec fn next(&self) -> usize {
        self.next_id
    }

    /// A reactor with no wakers, whose first token is 1.
    pub fn new() -> (r: Reactor)
        ensures
            r.wakers().is_empty(),
            r.next() == 1,
    {
        Reactor { wakers: HashMap::new(), next_id: 1 }
    }

    /// The token that `next_id` hands out next; it can hand one out while this is below
    /// `usize::MAX`.
    pub fn peek_id(&self) -> (token: usize)
        ensures
            token == self.next(),
    {
        self.next_id
    }

    /// A token that was never handed out before.
    pub fn next_id(&mut self) -> (token: usize)
        requires
            old(self).next() < usize::MAX,
        ensures
            token == old(self).next(),
            final(self).next() == old(self).next() + 1,
            final(self).wakers() == old(self).wakers(),
    {
        let token = self.next_id;
        self.next_id = token + 1;
        token
    }

    /// Stores `waker` for `id`, replacing the waker stored before, if any.
    pub fn set_waker(&mut self, waker: &Waker, id: usize)
        ensures
            final(self).wakers() == old(self).wakers().insert(id, *waker),
            final(self).next() == old(self).next(),
    {
        let _ = self.wakers.insert(id, waker.clone());
    }

    /// Drops the waker stored for `id`, so that a later event for it is ignored. The
    /// caller then removes the source from the event queue.
    pub fn deregister(&mut self, id: usize)
        ensures
            final(self).wakers() == old(self).wakers().remove(id),
            final(self).next() == old(self).next(),
    {
        let _ = self.wakers.remove(&id);
    }

    /// Handles a readiness event for `token`: invokes the waker stored for it, if any, and
    /// returns the id of the task it woke.
    pub fn wake(&self, token: usize) -> (woken: Option<usize>)
        ensures
            woken == (match target(self.wakers(), token) {
                Some(w) => Some(w.task_id()),
                None => None,
            }),
    {
        match self.wakers.get(&token) {
            Some(w) => {
                w.wake();
                Some(w.id())
            },
            None => None,
        }
    }

    /// Handles a batch of readiness events, in order; returns the ids of the tasks woken.
    pub fn dispatch(&self, tokens: &Vec<usize>) -> (woken: Vec<usize>)
        ensures
            woken@ == woken_ids(self.wakers(), tokens@),
    {
        let mut woken: Vec<usize> = Vec::new();
        let mut i: usize = 0;
        while i < tokens.len()
            invariant
                i <= tokens.len(),
                woken@ == woken_ids(self.wakers(), tokens@.subrange(0, i as int)),
            decreases tokens.len() - i,
        {
            let r = self.wake(tokens[i]);
            proof {
                let pre = tokens@.subrange(0, i + 1);
                assert(pre.drop_last() == tokens@.subrange(0, i as int));
                assert(pre.last() == tokens@[i as int]);
            }
            match r {
                Some(id) => woken.push(id),
                None => {},
            }
            i = i + 1;
        }
        proof {
            assert(tokens@.subrange(0, i as int) == tokens@);
        }
        woken
    }
}

/// Of two wakers stored for one token before its event fires, only the later one is
/// invoked by the event.
pub proof fn lemma_latest_waker_wins(wakers: Map<usize, Waker>, token: usize, first: Waker, second: Waker)
    ensures
        target(wakers.insert(token, first).insert(token, second), token) == Some(second),
{
}

/// After a token is deregistered, a readiness event for it invokes no waker.
pub proof fn lemma_deregistered_is_ignored(wakers: Map<usize, Waker>, token: usize)
    ensures
        target(wakers.remove(token), token) is None,
        woken_ids(wakers.remove(token), seq![token]).len() == 0,
{
    let m = wakers.remove(token);
    assert(seq![token].drop_last() == Seq::<usize>::empty());
    assert(woken_ids(m, Seq::<usize>::empty()).len() == 0);
    assert(seq![token].last() == token);
}

} // verus!
