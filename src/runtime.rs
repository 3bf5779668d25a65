use crate::executor::Executor;
use crate::future::Future;
use crate::reactor::Reactor;
use vstd::prelude::*;

verus! {

/// The state that a runtime starts from: a reactor with no wakers whose first token is 1,
/// and an empty executor for the calling thread. The embedding program shares the reactor
/// with its event-loop thread; this happens once per process.
pub fn init<F: Future>() -> (rt: (Reactor, Executor<F>))
    ensures
        rt.0.wakers().is_empty(),
        rt.0.next() == 1,
        rt.1.wf(),
        rt.1.tasks().is_empty(),
        rt.1.ready().len() == 0,
        rt.1.next() == 0,
{
    (Reactor::new(), Executor::new())
}

} // verus!
